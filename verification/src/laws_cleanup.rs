//! What a cleanup does to messages, blocks, results and attachments, said of
//! what stands in a thread before and after it.
use crate::agent::{cleaned_blocks, without_redacted};
use crate::attachments::{cleaned_user_content, shrunk_attachment};
use crate::clean::{
    cleaned_thread, messages_after, usage_fits, usage_of, user_id_list, user_ids,
};
use crate::config::{byte_limit, default_limit, CleanConfig};
use crate::dedup::{content_reads, file_reads, superseded_ids};
use crate::json::{compact_text, unsigned_number, Json};
use crate::protect::{
    dialogs_from, is_dialog, is_protected, protected_count, protected_zone,
};
use crate::size_label::size_label;
use crate::text::{byte_count, truncated};
use crate::tool_results::{cleaned_result, clipped_content, clipped_output, text_of_content};
use crate::types::{
    AgentContentModel, AgentModel, MessageModel, ThreadModel, TokenUsage, ToolResultModel,
    UserContentModel,
};
use crate::usage::{kept_usage, usage_totals};
use vstd::prelude::*;

verus! {

proof fn lemma_dialogs_counted(m: Seq<MessageModel>, i: int)
    requires
        0 <= i,
    ensures
        ({
            let s = Set::new(
                |j: int| i <= j && j + 1 < m.len() && m[j] is User && m[j + 1] is Agent,
            );
            s.finite() && s.len() == dialogs_from(m, i)
        }),
    decreases m.len() - i,
{
    let s = Set::new(|j: int| i <= j && j + 1 < m.len() && m[j] is User && m[j + 1] is Agent);
    if i >= m.len() {
        assert(s =~= Set::<int>::empty());
    } else {
        lemma_dialogs_counted(m, i + 1);
        let rest = Set::new(
            |j: int| i + 1 <= j && j + 1 < m.len() && m[j] is User && m[j + 1] is Agent,
        );
        if is_dialog(m, i) {
            assert(s =~= rest.insert(i));
        } else {
            assert(s =~= rest);
        }
    }
}

/// A message is protected exactly if it is the User or the Agent message of a
/// dialog behind which fewer than `keep` dialogs start.
pub proof fn law_the_last_dialogs_are_protected(m: Seq<MessageModel>, keep: nat, i: int)
    ensures
        is_protected(m, keep, i) <==> exists|d: int|
            (d == i || d + 1 == i) && 0 <= d && d + 1 < m.len() && (#[trigger] m[d]) is User
                && m[d + 1] is Agent && Set::new(
                |j: int| d < j && j + 1 < m.len() && m[j] is User && m[j + 1] is Agent,
            ).len() < keep,
        0 <= i <= usize::MAX ==> (protected_zone(m, keep).contains(i as usize) <==> is_protected(
            m,
            keep,
            i,
        )),
{
    assert forall|d: int|
        0 <= d && d + 1 < m.len() && (#[trigger] m[d]) is User && m[d + 1] is Agent implies (
    Set::new(
        |j: int| d < j && j + 1 < m.len() && m[j] is User && m[j + 1] is Agent,
    ).len() < keep <==> dialogs_from(m, d) <= keep) by {
        lemma_dialogs_counted(m, d + 1);
        assert(Set::new(|j: int| d < j && j + 1 < m.len() && m[j] is User && m[j + 1] is Agent)
            =~= Set::new(
            |j: int| d + 1 <= j && j + 1 < m.len() && m[j] is User && m[j + 1] is Agent,
        ));
        assert(is_dialog(m, d));
    }
    if is_protected(m, keep, i) {
        if is_dialog(m, i) && dialogs_from(m, i) <= keep {
            assert(m[i] is User);
        } else {
            assert(m[i - 1] is User);
        }
    }
}

/// Two messages are protected for each kept dialog: for `keep` of them, or for
/// all where there are fewer.
pub proof fn law_the_zone_has_two_messages_for_each_dialog(m: Seq<MessageModel>, keep: nat)
    ensures
        ({
            let all = Set::new(
                |j: int| 0 <= j && j + 1 < m.len() && m[j] is User && m[j + 1] is Agent,
            ).len();
            &&& all <= keep ==> protected_count(m, keep) == all + all
            &&& all >= keep ==> protected_count(m, keep) == keep + keep
        }),
{
    lemma_dialogs_counted(m, 0);
}

proof fn lemma_blocks_in_place(c: Seq<AgentContentModel>, strip: bool)
    ensures
        ({
            let kept = c.filter(|b: AgentContentModel| b is Text || b is ToolUse);
            let after = cleaned_blocks(c, strip);
            &&& after.len() == kept.len()
            &&& forall|k: int|
                0 <= k < kept.len() ==> {
                    &&& (#[trigger] kept[k]) is Text ==> after[k] == kept[k]
                    &&& kept[k] matches AgentContentModel::ToolUse(t) ==> {
                        &&& after[k] matches AgentContentModel::ToolUse(u)
                        &&& u.id == t.id
                        &&& u.name == t.name
                        &&& u.is_input_complete == t.is_input_complete
                        &&& u.thought_signature == t.thought_signature
                        &&& strip ==> u.raw_input == Some("{}"@) && u.input == Some(
                            Json::Object(Map::empty()),
                        )
                        &&& !strip ==> u == t
                    }
                }
        }),
    decreases c.len(),
{
    reveal(Seq::filter);
    if c.len() > 0 {
        lemma_blocks_in_place(c.drop_last(), strip);
    }
}

/// Every text block and every tool call of a message stays, in order and in its
/// place among the others: the cleaned message has exactly as many blocks as
/// the message had texts and calls, a text is the same text, and a call the
/// same call but for its input. Everything else goes.
pub proof fn law_texts_and_calls_stay_in_place(
    c: Seq<AgentContentModel>,
    strip: bool,
    k: int,
)
    ensures
        ({
            let kept = c.filter(|b: AgentContentModel| b is Text || b is ToolUse);
            let after = cleaned_blocks(c, strip);
            &&& after.len() == kept.len()
            &&& 0 <= k < kept.len() ==> {
                &&& kept[k] is Text ==> after[k] == kept[k]
                &&& kept[k] matches AgentContentModel::ToolUse(t) ==> {
                    &&& after[k] matches AgentContentModel::ToolUse(u)
                    &&& u.id == t.id
                    &&& u.name == t.name
                    &&& u.is_input_complete == t.is_input_complete
                    &&& u.thought_signature == t.thought_signature
                    &&& strip ==> u.raw_input == Some("{}"@) && u.input == Some(
                        Json::Object(Map::empty()),
                    )
                    &&& !strip ==> u == t
                }
            }
        }),
{
    lemma_blocks_in_place(c, strip);
}

/// Dropping redacted thinking drops just that: every other block stays, in
/// order.
pub proof fn law_only_redacted_thinking_is_dropped(c: Seq<AgentContentModel>)
    ensures
        without_redacted(c) == c.filter(|b: AgentContentModel| !(b is RedactedThinking)),
    decreases c.len(),
{
    reveal(Seq::filter);
    if c.len() > 0 {
        law_only_redacted_thinking_is_dropped(c.drop_last());
    }
}

/// The places of the messages that a cleanup keeps: all but the unprotected
/// Agent messages without a text block, where the settings remove those.
pub open spec fn places_kept(m: Seq<MessageModel>, config: CleanConfig, n: nat) -> Seq<int> {
    Seq::new(n, |j: int| j).filter(
        |j: int|
            {
                ||| !config.remove_tool_only_messages
                ||| is_protected(m, config.keep_last_n_dialogs as nat, j)
                ||| !(m[j] is Agent)
                ||| exists|p: int|
                    0 <= p < m[j]->Agent_0.content.len() && (
                    #[trigger] m[j]->Agent_0.content[p]) is Text
            },
    )
}

/// `after` is what becomes of the message at `i`, which a cleanup keeps.
pub open spec fn is_message_after(
    m: Seq<MessageModel>,
    config: CleanConfig,
    i: int,
    after: MessageModel,
) -> bool {
    let keep = config.keep_last_n_dialogs as nat;
    let superseded = superseded_ids(file_reads(m, protected_zone(m, keep)));
    let kept = is_protected(m, keep, i);
    &&& m[i] is Other ==> after == m[i]
    &&& kept && !config.fix_redacted_thinking ==> after == m[i]
    &&& m[i] matches MessageModel::User(u) ==> {
        &&& kept || !config.remove_large_images ==> after == m[i]
        &&& after matches MessageModel::User(w)
        &&& w.id == u.id
        &&& w.content.len() == u.content.len()
        &&& !kept && config.remove_large_images ==> forall|p: int|
            0 <= p < u.content.len() ==> (#[trigger] w.content[p]) == cleaned_user_content(
                u.content[p],
                config.large_image_threshold as nat,
            )
    }
    &&& m[i] matches MessageModel::Agent(a) ==> {
        &&& after matches MessageModel::Agent(b)
        &&& kept && config.fix_redacted_thinking ==> {
            &&& b.content == a.content.filter(|c: AgentContentModel| !(c is RedactedThinking))
            &&& b.tool_results == a.tool_results
            &&& b.reasoning_details == a.reasoning_details
        }
        &&& !kept ==> {
            &&& b.reasoning_details is None
            &&& b.content == cleaned_blocks(a.content, config.strip_tool_inputs)
            &&& a.tool_results is None ==> b.tool_results is None
            &&& a.tool_results matches Some(rs) ==> {
                &&& b.tool_results matches Some(qs)
                &&& qs.len() == rs.len()
                &&& forall|p: int|
                    0 <= p < rs.len() ==> (#[trigger] qs[p]).0 == rs[p].0 && qs[p].1
                        == cleaned_result(rs[p].1, config, superseded)
            }
        }
    }
}

proof fn lemma_messages_in_place(m: Seq<MessageModel>, config: CleanConfig, n: nat)
    requires
        n <= m.len() <= usize::MAX,
    ensures
        ({
            let zone = protected_zone(m, config.keep_last_n_dialogs as nat);
            let after = messages_after(
                m,
                n as int,
                zone,
                config,
                superseded_ids(file_reads(m, zone)),
            );
            let places = places_kept(m, config, n);
            &&& after.len() == places.len()
            &&& forall|k: int|
                0 <= k < places.len() ==> 0 <= (#[trigger] places[k]) < n && is_message_after(
                    m,
                    config,
                    places[k],
                    after[k],
                )
        }),
    decreases n,
{
    reveal(Seq::filter);
    if n > 0 {
        lemma_messages_in_place(m, config, (n - 1) as nat);
        let i = n - 1;
        let zone = protected_zone(m, config.keep_last_n_dialogs as nat);
        assert(Seq::new(n, |j: int| j).drop_last() =~= Seq::new((n - 1) as nat, |j: int| j));
        assert(Seq::new(n, |j: int| j).last() == i);
        assert(zone.contains(i as usize) == is_protected(
            m,
            config.keep_last_n_dialogs as nat,
            i,
        ));
        if let MessageModel::Agent(a) = m[i] {
            law_only_redacted_thinking_is_dropped(a.content);
        }
    }
}

/// A cleaned thread has the messages that are kept, in order, and each is what
/// becomes of the message that stood there.
pub proof fn law_messages_of_a_cleaned_thread(t: ThreadModel, config: CleanConfig, k: int)
    requires
        t.messages.len() <= usize::MAX,
    ensures
        ({
            let places = places_kept(t.messages, config, t.messages.len());
            let after = cleaned_thread(t, config).messages;
            &&& after.len() == places.len()
            &&& 0 <= k < places.len() ==> 0 <= places[k] < t.messages.len() && is_message_after(
                t.messages,
                config,
                places[k],
                after[k],
            )
        }),
{
    lemma_messages_in_place(t.messages, config, t.messages.len());
}

/// A message outside the protected zone that a cleanup keeps loses no text and
/// no call: it has as many blocks as the message had of both, and each is the
/// one that stood in its place, by kind, text, id and name.
pub proof fn law_no_call_is_lost(t: ThreadModel, config: CleanConfig, k: int, p: int)
    requires
        t.messages.len() <= usize::MAX,
        0 <= k < places_kept(t.messages, config, t.messages.len()).len(),
        ({
            let i = places_kept(t.messages, config, t.messages.len())[k];
            &&& t.messages[i] is Agent
            &&& !is_protected(t.messages, config.keep_last_n_dialogs as nat, i)
        }),
    ensures
        ({
            let i = places_kept(t.messages, config, t.messages.len())[k];
            let before = t.messages[i]->Agent_0.content.filter(
                |b: AgentContentModel| b is Text || b is ToolUse,
            );
            &&& cleaned_thread(t, config).messages[k] matches MessageModel::Agent(a)
            &&& a.content.len() == before.len()
            &&& 0 <= p < before.len() ==> {
                &&& before[p] is Text ==> a.content[p] == before[p]
                &&& before[p] matches AgentContentModel::ToolUse(x) ==> {
                    &&& a.content[p] matches AgentContentModel::ToolUse(y)
                    &&& x.id == y.id
                    &&& x.name == y.name
                }
            }
        }),
{
    law_messages_of_a_cleaned_thread(t, config, k);
    let i = places_kept(t.messages, config, t.messages.len())[k];
    lemma_blocks_in_place(t.messages[i]->Agent_0.content, config.strip_tool_inputs);
}

/// A call of `read_file` with the path `path` and the id `id` stands in an Agent
/// message outside `zone`: at `i` among the messages, at `p` among its blocks.
pub open spec fn read_stands_at(
    m: Seq<MessageModel>,
    zone: Set<usize>,
    i: int,
    p: int,
    path: Seq<char>,
    id: Seq<char>,
) -> bool {
    &&& 0 <= i < m.len()
    &&& !zone.contains(i as usize)
    &&& m[i] matches MessageModel::Agent(a)
    &&& 0 <= p < a.content.len()
    &&& a.content[p] matches AgentContentModel::ToolUse(t)
    &&& t.name == "read_file"@
    &&& t.id == id
    &&& t.input matches Some(Json::Object(o))
    &&& o.contains_key("path"@)
    &&& o["path"@] == Json::Text(path)
}

/// A read stands at `p` among the blocks `c`.
spec fn is_read_at(c: Seq<AgentContentModel>, p: int) -> bool {
    let one = seq![MessageModel::Agent(
        AgentModel { content: c, tool_results: None, reasoning_details: None },
    )];
    exists|path: Seq<char>, id: Seq<char>| read_stands_at(one, Set::empty(), 0, p, path, id)
}

/// Where the reads of a list of blocks stand.
spec fn block_places(c: Seq<AgentContentModel>) -> Seq<int>
    decreases c.len(),
{
    if c.len() == 0 {
        Seq::empty()
    } else {
        let before = block_places(c.drop_last());
        if is_read_at(c, c.len() - 1) {
            before.push(c.len() - 1)
        } else {
            before
        }
    }
}

proof fn lemma_block_places(c: Seq<AgentContentModel>)
    ensures
        ({
            let places = block_places(c);
            let reads = content_reads(c);
            let one = seq![MessageModel::Agent(
                AgentModel { content: c, tool_results: None, reasoning_details: None },
            )];
            &&& places.len() == reads.len()
            &&& forall|k: int|
                0 <= k < places.len() ==> 0 <= (#[trigger] places[k]) < c.len() && read_stands_at(
                    one,
                    Set::empty(),
                    0,
                    places[k],
                    reads[k].0,
                    reads[k].1,
                )
            &&& forall|k: int, l: int|
                0 <= k < l < places.len() ==> (#[trigger] places[k]) < (#[trigger] places[l])
            &&& forall|p: int, path: Seq<char>, id: Seq<char>|
                #[trigger] read_stands_at(one, Set::empty(), 0, p, path, id) ==> places.contains(p)
        }),
    decreases c.len(),
{
    let one = seq![MessageModel::Agent(
        AgentModel { content: c, tool_results: None, reasoning_details: None },
    )];
    let places = block_places(c);
    let reads = content_reads(c);
    if c.len() > 0 {
        let rest = c.drop_last();
        let short = seq![MessageModel::Agent(
            AgentModel { content: rest, tool_results: None, reasoning_details: None },
        )];
        lemma_block_places(rest);
        let before = block_places(rest);
        let last = c.len() - 1;
        assert(c[last] == c.last());
        assert forall|p: int, path: Seq<char>, id: Seq<char>|
            p < last implies #[trigger] read_stands_at(one, Set::empty(), 0, p, path, id)
            == read_stands_at(short, Set::empty(), 0, p, path, id) by {
            if 0 <= p {
                assert(rest[p] == c[p]);
            }
        }
        if is_read_at(c, last) {
            let (path, id) = choose|path: Seq<char>, id: Seq<char>|
                read_stands_at(one, Set::empty(), 0, last, path, id);
            assert(read_stands_at(one, Set::empty(), 0, last, path, id));
            assert(reads == content_reads(rest).push((path, id)));
        } else {
            if let AgentContentModel::ToolUse(t) = c.last() {
                if let Some(Json::Object(o)) = t.input {
                    if o.contains_key("path"@) {
                        if let Json::Text(path) = o["path"@] {
                            assert(!read_stands_at(one, Set::empty(), 0, last, path, t.id));
                        }
                    }
                }
            }
            assert(reads == content_reads(rest));
        }
        assert forall|k: int| 0 <= k < places.len() implies 0 <= (#[trigger] places[k]) < c.len()
            && read_stands_at(one, Set::empty(), 0, places[k], reads[k].0, reads[k].1) by {
            if k < before.len() {
                assert(places[k] == before[k]);
                assert(read_stands_at(
                    short,
                    Set::empty(),
                    0,
                    before[k],
                    content_reads(rest)[k].0,
                    content_reads(rest)[k].1,
                ));
            }
        }
        assert forall|k: int, l: int| 0 <= k < l < places.len() implies (#[trigger] places[k]) < (
        #[trigger] places[l]) by {
            assert(places[k] == before[k]);
            if l < before.len() {
                assert(places[l] == before[l]);
            }
        }
        assert forall|p: int, path: Seq<char>, id: Seq<char>|
            #[trigger] read_stands_at(one, Set::empty(), 0, p, path, id) implies places.contains(
            p,
        ) by {
            if p == last {
                assert(places[places.len() - 1] == last);
            } else {
                assert(read_stands_at(short, Set::empty(), 0, p, path, id));
                let k = choose|k: int| 0 <= k < before.len() && before[k] == p;
                assert(places[k] == p);
            }
        }
    }
}

/// Where the reads of a thread stand.
spec fn thread_places(m: Seq<MessageModel>, zone: Set<usize>) -> Seq<(int, int)>
    decreases m.len(),
{
    if m.len() == 0 {
        Seq::empty()
    } else {
        let before = thread_places(m.drop_last(), zone);
        match m.last() {
            MessageModel::Agent(a) => if zone.contains((m.len() - 1) as usize) {
                before
            } else {
                let places = block_places(a.content);
                before + Seq::new(places.len(), |k: int| (m.len() - 1, places[k]))
            },
            _ => before,
        }
    }
}

/// One call stands before another.
pub open spec fn stands_before(i: int, p: int, j: int, q: int) -> bool {
    i < j || (i == j && p < q)
}

#[verifier::rlimit(40)]
proof fn lemma_thread_places(m: Seq<MessageModel>, zone: Set<usize>)
    ensures
        ({
            let places = thread_places(m, zone);
            let reads = file_reads(m, zone);
            &&& places.len() == reads.len()
            &&& forall|k: int|
                0 <= k < places.len() ==> 0 <= (#[trigger] places[k]).0 < m.len()
                    && read_stands_at(
                    m,
                    zone,
                    places[k].0,
                    places[k].1,
                    reads[k].0,
                    reads[k].1,
                )
            &&& forall|k: int, l: int|
                0 <= k < l < places.len() ==> stands_before(
                    (#[trigger] places[k]).0,
                    places[k].1,
                    (#[trigger] places[l]).0,
                    places[l].1,
                )
            &&& forall|i: int, p: int, path: Seq<char>, id: Seq<char>|
                #[trigger] read_stands_at(m, zone, i, p, path, id) ==> places.contains((i, p))
        }),
    decreases m.len(),
{
    let places = thread_places(m, zone);
    let reads = file_reads(m, zone);
    if m.len() > 0 {
        let rest = m.drop_last();
        let last = m.len() - 1;
        lemma_thread_places(rest, zone);
        let before = thread_places(rest, zone);
        let before_reads = file_reads(rest, zone);
        assert forall|i: int, p: int, path: Seq<char>, id: Seq<char>|
            i < last implies #[trigger] read_stands_at(m, zone, i, p, path, id) == read_stands_at(
            rest,
            zone,
            i,
            p,
            path,
            id,
        ) by {
            if 0 <= i {
                assert(rest[i] == m[i]);
            }
        }
        let inner = match m.last() {
            MessageModel::Agent(a) => if zone.contains(last as usize) {
                Seq::<int>::empty()
            } else {
                block_places(a.content)
            },
            _ => Seq::empty(),
        };
        if let MessageModel::Agent(a) = m.last() {
            lemma_block_places(a.content);
            let one = seq![MessageModel::Agent(
                AgentModel { content: a.content, tool_results: None, reasoning_details: None },
            )];
            if !zone.contains(last as usize) {
                assert forall|p: int, path: Seq<char>, id: Seq<char>|
                    #[trigger] read_stands_at(m, zone, last, p, path, id) == read_stands_at(
                    one,
                    Set::empty(),
                    0,
                    p,
                    path,
                    id,
                ) by {}
            }
        }
        assert(places.len() == before.len() + inner.len());
        assert forall|k: int| 0 <= k < places.len() implies 0 <= (#[trigger] places[k]).0 < m.len()
            && read_stands_at(m, zone, places[k].0, places[k].1, reads[k].0, reads[k].1) by {
            if k < before.len() {
                assert(places[k] == before[k]);
                assert(read_stands_at(
                    rest,
                    zone,
                    before[k].0,
                    before[k].1,
                    before_reads[k].0,
                    before_reads[k].1,
                ));
            } else {
                assert(inner[k - before.len()] == places[k].1);
            }
        }
        assert forall|k: int, l: int| 0 <= k < l < places.len() implies stands_before(
            (#[trigger] places[k]).0,
            places[k].1,
            (#[trigger] places[l]).0,
            places[l].1,
        ) by {
            if l < before.len() {
                assert(places[k] == before[k] && places[l] == before[l]);
            } else if k < before.len() {
                assert(places[k] == before[k]);
                assert(places[l].0 == last);
            } else {
                assert(inner[k - before.len()] < inner[l - before.len()]);
            }
        }
        assert forall|i: int, p: int, path: Seq<char>, id: Seq<char>|
            #[trigger] read_stands_at(m, zone, i, p, path, id) implies places.contains((i, p)) by {
            if i < last {
                assert(read_stands_at(rest, zone, i, p, path, id));
                let k = choose|k: int| 0 <= k < before.len() && before[k] == (i, p);
                assert(places[k] == (i, p));
            } else {
                assert(inner.contains(p));
                let k = choose|k: int| 0 <= k < inner.len() && inner[k] == p;
                assert(places[before.len() + k] == (last, p));
            }
        }
    }
}

/// A file read is superseded exactly if a later call of `read_file`, outside the
/// zone like the read itself, has the same path. Calls of other tools take no
/// part.
pub proof fn law_a_read_is_superseded_by_a_later_read_of_its_path(
    m: Seq<MessageModel>,
    zone: Set<usize>,
    id: Seq<char>,
)
    ensures
        superseded_ids(file_reads(m, zone)).contains(id) <==> exists|
            i: int,
            p: int,
            j: int,
            q: int,
            path: Seq<char>,
            other: Seq<char>,
        |
            #[trigger] read_stands_at(m, zone, i, p, path, id) && #[trigger] read_stands_at(
                m,
                zone,
                j,
                q,
                path,
                other,
            ) && stands_before(i, p, j, q),
{
    let places = thread_places(m, zone);
    let reads = file_reads(m, zone);
    lemma_thread_places(m, zone);
    if superseded_ids(reads).contains(id) {
        let k = choose|k: int|
            0 <= k < reads.len() && (#[trigger] reads[k]).1 == id && crate::dedup::is_superseded(
                reads,
                k,
            );
        let l = choose|l: int| k < l < reads.len() && (#[trigger] reads[l]).0 == reads[k].0;
        assert(read_stands_at(m, zone, places[k].0, places[k].1, reads[k].0, id));
        assert(read_stands_at(m, zone, places[l].0, places[l].1, reads[k].0, reads[l].1));
        assert(stands_before(places[k].0, places[k].1, places[l].0, places[l].1));
    }
    if exists|i: int, p: int, j: int, q: int, path: Seq<char>, other: Seq<char>|
        #[trigger] read_stands_at(m, zone, i, p, path, id) && #[trigger] read_stands_at(
            m,
            zone,
            j,
            q,
            path,
            other,
        ) && stands_before(i, p, j, q) {
        let (i, p, j, q, path, other) = choose|
            i: int,
            p: int,
            j: int,
            q: int,
            path: Seq<char>,
            other: Seq<char>,
        |
            #[trigger] read_stands_at(m, zone, i, p, path, id) && #[trigger] read_stands_at(
                m,
                zone,
                j,
                q,
                path,
                other,
            ) && stands_before(i, p, j, q);
        assert(places.contains((i, p)) && places.contains((j, q)));
        let k = choose|k: int| 0 <= k < places.len() && places[k] == (i, p);
        let l = choose|l: int| 0 <= l < places.len() && places[l] == (j, q);
        assert(places[k] == (i, p) && places[l] == (j, q));
        if l < k {
            assert(stands_before(places[l].0, places[l].1, places[k].0, places[k].1));
        }
        assert(k < l);
        assert(reads[k].0 == path && reads[k].1 == id);
        assert(reads[l].0 == path);
        assert(crate::dedup::is_superseded(reads, k));
    }
}

/// A call of another tool than `read_file` is no file read, and the last read
/// of a path is superseded by none: with ids that are used once, neither of
/// them is among the superseded ids.
pub proof fn law_other_calls_and_last_reads_are_not_superseded(
    m: Seq<MessageModel>,
    zone: Set<usize>,
    i: int,
    p: int,
)
    requires
        0 <= i < m.len(),
        m[i] is Agent,
        0 <= p < m[i]->Agent_0.content.len(),
        m[i]->Agent_0.content[p] is ToolUse,
        forall|j: int, q: int|
            0 <= j < m.len() && m[j] is Agent && 0 <= q < m[j]->Agent_0.content.len() && (
            #[trigger] m[j]->Agent_0.content[q]) is ToolUse
                && m[j]->Agent_0.content[q]->ToolUse_0.id
                == m[i]->Agent_0.content[p]->ToolUse_0.id ==> j == i && q == p,
    ensures
        ({
            let t = m[i]->Agent_0.content[p]->ToolUse_0;
            let ids = superseded_ids(file_reads(m, zone));
            &&& t.name != "read_file"@ ==> !ids.contains(t.id)
            &&& zone.contains(i as usize) ==> !ids.contains(t.id)
            &&& (forall|j: int, q: int, path: Seq<char>, other: Seq<char>|
                #![trigger read_stands_at(m, zone, j, q, path, other)]
                read_stands_at(m, zone, i, p, path, t.id) && stands_before(i, p, j, q)
                    ==> !read_stands_at(m, zone, j, q, path, other)) ==> !ids.contains(t.id)
        }),
{
    let t = m[i]->Agent_0.content[p]->ToolUse_0;
    law_a_read_is_superseded_by_a_later_read_of_its_path(m, zone, t.id);
    if superseded_ids(file_reads(m, zone)).contains(t.id) {
        let (i2, p2, j, q, path, other) = choose|
            i2: int,
            p2: int,
            j: int,
            q: int,
            path: Seq<char>,
            other: Seq<char>,
        |
            #[trigger] read_stands_at(m, zone, i2, p2, path, t.id) && #[trigger] read_stands_at(
                m,
                zone,
                j,
                q,
                path,
                other,
            ) && stands_before(i2, p2, j, q);
        assert(m[i2]->Agent_0.content[p2]->ToolUse_0.id == t.id);
        assert(i2 == i && p2 == p);
        assert(read_stands_at(m, zone, j, q, path, other));
    }
}

/// What a cleanup makes of a tool result, by the shape of its content and its
/// output. A text is cut at the limit of the tool, whether it stands alone or
/// under `Text`; other values are cut as their JSON text; `null` stays. Output
/// that is not removed is cut at half the limit, and stays as it is below that.
pub proof fn law_results_by_their_shape(
    r: ToolResultModel,
    config: CleanConfig,
    superseded: Set<Seq<char>>,
)
    ensures
        ({
            let q = cleaned_result(r, config, superseded);
            let skipped = config.skip_tool_names@.map_values(|s: String| s@).contains(r.tool_name);
            &&& q.tool_use_id == r.tool_use_id
            &&& q.tool_name == r.tool_name
            &&& q.is_error == r.is_error
            &&& skipped ==> q.content == r.content && q.output == r.output
            &&& !skipped && superseded.contains(r.tool_use_id) ==> {
                &&& q.content == Some(
                    Json::Text(
                        "[DUPLICATE READ_FILE RESULT REMOVED: see last call for this file]"@,
                    ),
                )
                &&& q.output is None
            }
            &&& !skipped && !superseded.contains(r.tool_use_id) ==> {
                &&& config.strip_tool_output || r.output is None ==> q.output is None
                &&& byte_limit(r.tool_name, config) is None ==> q.content == r.content && (
                config.strip_tool_output || q.output == r.output)
                &&& byte_limit(r.tool_name, config) matches Some(l) ==> {
                    &&& match r.content {
                        None => q.content is None,
                        Some(Json::Null) => q.content == Some(Json::Null),
                        Some(Json::Text(s)) => q.content == Some(
                            Json::Text(truncated(s, l as nat)),
                        ),
                        Some(Json::Object(o)) if o.contains_key("Text"@) => {
                            let s = match o["Text"@] {
                                Json::Text(inner) => inner,
                                _ => compact_text(Json::Object(o)),
                            };
                            q.content == Some(
                                Json::Object(map!["Text"@ => Json::Text(truncated(s, l as nat))]),
                            )
                        },
                        Some(v) => q.content == Some(
                            Json::Text(truncated(compact_text(v), l as nat)),
                        ),
                    }
                    &&& !config.strip_tool_output && r.output is Some ==> {
                        let half = (l as int / 2) as nat;
                        match r.output->0 {
                            Json::Text(s) => q.output == Some(Json::Text(truncated(s, half))),
                            Json::Object(o) if o.contains_key("Text"@) => {
                                let s = match o["Text"@] {
                                    Json::Text(inner) => inner,
                                    _ => compact_text(Json::Object(o)),
                                };
                                &&& byte_count(s) <= half ==> q.output == r.output
                                &&& byte_count(s) > half ==> q.output == Some(
                                    Json::Object(map!["Text"@ => Json::Text(truncated(s, half))]),
                                )
                            },
                            v => {
                                let s = compact_text(v);
                                &&& byte_count(s) <= half ==> q.output == r.output
                                &&& byte_count(s) > half ==> q.output == Some(
                                    Json::Text(truncated(s, half)),
                                )
                            },
                        }
                    }
                }
            }
        }),
{
    let names = config.skip_tool_names@.map_values(|s: String| s@);
    if config.skips(r.tool_name) {
        let i = choose|i: int|
            0 <= i < config.skip_tool_names@.len() && (#[trigger] config.skip_tool_names@[i])@
                == r.tool_name;
        assert(names[i] == r.tool_name);
    }
    if names.contains(r.tool_name) {
        let i = choose|i: int| 0 <= i < names.len() && names[i] == r.tool_name;
        assert(config.skip_tool_names@[i]@ == r.tool_name);
    }
}

/// Which limit the results of a tool have: none for tools whose results are
/// kept whole, the search limit for searches, the read limit for `read_file`,
/// and the terminal limit for every other tool. A default cleanup keeps 2000
/// bytes, and 3000 of a file.
pub proof fn law_limits_by_tool(tool: Seq<char>, config: CleanConfig)
    ensures
        ({
            let whole = set![
                "create_directory"@,
                "copy_path"@,
                "move_path"@,
                "delete_path"@,
                "spawn_agent"@,
                "save_file"@,
            ];
            let searches = set!["grep"@, "find_path"@, "list_directory"@];
            let l = byte_limit(tool, config);
            &&& l is None <==> whole.contains(tool)
            &&& default_limit(tool) is None <==> whole.contains(tool)
            &&& searches.contains(tool) ==> l == Some(config.search_limit)
            &&& tool == "read_file"@ ==> l == Some(config.read_file_limit) && default_limit(tool)
                == Some(3000usize)
            &&& !whole.contains(tool) && !searches.contains(tool) && tool != "read_file"@ ==> l
                == Some(config.terminal_limit)
            &&& !whole.contains(tool) && tool != "read_file"@ ==> default_limit(tool) == Some(
                2000usize,
            )
        }),
{
    reveal_strlit("create_directory");
    reveal_strlit("copy_path");
    reveal_strlit("move_path");
    reveal_strlit("delete_path");
    reveal_strlit("spawn_agent");
    reveal_strlit("save_file");
    reveal_strlit("terminal");
    reveal_strlit("ssh_run");
    reveal_strlit("ssh_connect");
    reveal_strlit("ssh_disconnect");
    reveal_strlit("ssh_status");
    reveal_strlit("grep");
    reveal_strlit("find_path");
    reveal_strlit("list_directory");
    reveal_strlit("read_file");
    let c = tool[0];
    if tool == "create_directory"@ || tool == "copy_path"@ {
        assert(c == 'c');
    } else if tool == "move_path"@ {
        assert(c == 'm');
    } else if tool == "delete_path"@ {
        assert(c == 'd');
    } else if tool == "find_path"@ {
        assert(c == 'f');
    } else if tool == "read_file"@ {
        assert(c == 'r');
    } else if tool == "grep"@ {
        assert(c == 'g');
    } else if tool == "list_directory"@ {
        assert(c == 'l');
    } else if tool == "terminal"@ {
        assert(c == 't');
    } else if tool == "spawn_agent"@ || tool == "save_file"@ {
        assert(tool[1] == 'p' || tool[1] == 'a');
    } else if tool == "ssh_run"@ || tool == "ssh_connect"@ || tool == "ssh_disconnect"@ || tool
        == "ssh_status"@ {
        assert(tool[1] == 's');
    }
}

/// What becomes of a block that is not text, where its `Image` takes `size`
/// bytes. Over the threshold it becomes an `Image` with a note of its kind and
/// size. Any other block whose `Mention` has a text over the threshold, with
/// an image beside it or without, becomes a `Mention` with the same uri and a
/// note of the size. All else stays.
pub proof fn law_attachments_of_a_size(v: Json, size: nat, threshold: nat)
    ensures
        ({
            let after = shrunk_attachment(v, size, threshold);
            let members = if v is Object {
                v->Object_0
            } else {
                Map::empty()
            };
            let image = members.contains_key("Image"@) && size > threshold;
            let mention = if members.contains_key("Mention"@) && members["Mention"@] is Object {
                members["Mention"@]->Object_0
            } else {
                Map::empty()
            };
            let large = mention.contains_key("content"@) && mention["content"@] is Text
                && byte_count(mention["content"@]->Text_0) > threshold;
            &&& image ==> {
                let source = if members["Image"@] is Object
                    && members["Image"@]->Object_0.contains_key("source"@)
                    && members["Image"@]->Object_0["source"@] is Text {
                    members["Image"@]->Object_0["source"@]->Text_0
                } else {
                    Seq::empty()
                };
                let kind = if source.len() >= 5 && source.take(5) == "iVBOR"@ {
                    "PNG image"@
                } else if source.len() >= 4 && source.take(4) == "/9j/"@ {
                    "JPEG image"@
                } else if source.len() >= 4 && source.take(4) == "R0lG"@ {
                    "GIF image"@
                } else {
                    "image"@
                };
                let note = "[REMOVED: "@ + kind + ", original "@ + size_label(size) + " base64]"@;
                after == Json::Object(
                    map!["Image"@ => Json::Object(map!["source"@ => Json::Text(note)])],
                )
            }
            &&& !image && large ==> {
                let uri = if mention.contains_key("uri"@) {
                    mention["uri"@]
                } else {
                    Json::Null
                };
                let note = "[CONTENT TRUNCATED: original "@ + size_label(
                    byte_count(mention["content"@]->Text_0),
                ) + "]"@;
                after == Json::Object(
                    map!["Mention"@ => Json::Object(
                        map!["uri"@ => uri, "content"@ => Json::Text(note)],
                    )],
                )
            }
            &&& !image && !large ==> after == v
        }),
{
    reveal_strlit("iVBOR");
    reveal_strlit("/9j/");
    reveal_strlit("R0lG");
    if let Some(img) = v.member("Image"@) {
        if let Some(s) = img.text_member("source"@) {
            lemma_prefix("iVBOR"@, s);
            lemma_prefix("/9j/"@, s);
            lemma_prefix("R0lG"@, s);
        } else {
            lemma_prefix("iVBOR"@, Seq::empty());
            lemma_prefix("/9j/"@, Seq::empty());
            lemma_prefix("R0lG"@, Seq::empty());
        }
    }
}

/// What a cleanup makes of a block of a User message: text stays, and an image
/// counts with the size of its JSON text. A mention over the threshold gives
/// way to a note wherever the image of the block is not over it or is not
/// there.
pub proof fn law_attachments_by_their_shape(c: UserContentModel, threshold: nat)
    ensures
        ({
            let after = cleaned_user_content(c, threshold);
            &&& c is Text ==> after == c
            &&& c matches UserContentModel::Other(v) ==> {
                &&& after is Other
                &&& v matches Json::Object(o) ==> {
                    let image = if o.contains_key("Image"@) {
                        byte_count(compact_text(o["Image"@]))
                    } else {
                        0
                    };
                    &&& after->Other_0 == shrunk_attachment(v, image, threshold)
                    &&& image <= threshold && o.contains_key("Mention"@) ==> (o["Mention"@] matches
                    Json::Object(p) ==> (p.contains_key("content"@) && p["content"@] is Text
                        && byte_count(p["content"@]->Text_0) > threshold ==> {
                        let mention = after->Other_0->Object_0["Mention"@]->Object_0;
                        &&& after->Other_0 is Object
                        &&& after->Other_0->Object_0.contains_key("Mention"@)
                        &&& after->Other_0->Object_0["Mention"@] is Object
                        &&& p.contains_key("uri"@) ==> mention["uri"@] == p["uri"@]
                        &&& mention["content"@] == Json::Text(
                            "[CONTENT TRUNCATED: original "@ + size_label(
                                byte_count(p["content"@]->Text_0),
                            ) + "]"@,
                        )
                    }))
                }
                &&& !(v is Object) ==> after == c
            }
        }),
{
    reveal_strlit("uri");
    reveal_strlit("content");
    assert("uri"@.len() != "content"@.len());
    if let UserContentModel::Other(v) = c {
        if let Json::Object(o) = v {
            let image = if o.contains_key("Image"@) {
                byte_count(compact_text(o["Image"@]))
            } else {
                0
            };
            law_attachments_of_a_size(v, image, threshold);
        }
    }
}

proof fn lemma_prefix(a: Seq<char>, s: Seq<char>)
    ensures
        a.is_prefix_of(s) <==> s.len() >= a.len() && s.take(a.len() as int) == a,
{
    if a.is_prefix_of(s) {
        assert(s.take(a.len() as int) =~= a);
    }
}

/// After a cleanup that removes large attachments, no block of an unprotected
/// User message has a mention with a text over the threshold, other than the
/// note that stands in its place.
pub proof fn law_no_large_mention_is_left(c: UserContentModel, threshold: nat)
    ensures
        ({
            let after = cleaned_user_content(c, threshold);
            after is Other && after->Other_0.member("Mention"@) is Some ==> (
            after->Other_0.member("Mention"@)->0.text_member("content"@) matches Some(s)
                ==> byte_count(s) <= threshold || exists|size: nat|
                size > threshold && s == "[CONTENT TRUNCATED: original "@ + (#[trigger] size_label(
                    size,
                )) + "]"@)
        }),
{
    reveal_strlit("Image");
    reveal_strlit("Mention");
    reveal_strlit("uri");
    reveal_strlit("content");
    assert("Image"@.len() != "Mention"@.len());
    assert("uri"@.len() != "content"@.len());
    law_attachments_by_their_shape(c, threshold);
    if let UserContentModel::Other(v) = c {
        let image = match v.member("Image"@) {
            Some(img) => byte_count(compact_text(img)),
            None => 0,
        };
        law_attachments_of_a_size(v, image, threshold);
    }
    let after = cleaned_user_content(c, threshold);
    if let UserContentModel::Other(v) = c {
        if !(v.member("Image"@) is Some && byte_count(compact_text(v.member("Image"@)->0))
            > threshold) {
            if let Some(mention) = v.member("Mention"@) {
                if let Some(s) = mention.text_member("content"@) {
                    if byte_count(s) > threshold {
                        let label = size_label(byte_count(s));
                        let note = "[CONTENT TRUNCATED: original "@ + label + "]"@;
                        assert(after->Other_0.member("Mention"@)->0.text_member("content"@)
                            == Some(note));
                    }
                }
            }
        }
    }
}

/// The usage of the requests that have a User message stays, in order, and no
/// other; the totals are over just those.
pub proof fn law_usage_by_request(usage: Seq<(Seq<char>, TokenUsage)>, ids: Set<Seq<char>>)
    ensures
        kept_usage(usage, ids) == usage.filter(|e: (Seq<char>, TokenUsage)| ids.contains(e.0)),
    decreases usage.len(),
{
    reveal(Seq::filter);
    if usage.len() > 0 {
        law_usage_by_request(usage.drop_last(), ids);
    }
}

/// Each of the four totals grows by the count of a request that is added, by
/// nothing where the count is absent, and starts at zero.
pub proof fn law_totals_grow_by_each_request(
    usage: Seq<(Seq<char>, TokenUsage)>,
    id: Seq<char>,
    u: TokenUsage,
)
    ensures
        ({
            let none = usage_totals(Seq::empty());
            let before = usage_totals(usage);
            let after = usage_totals(usage.push((id, u)));
            &&& none.input == 0 && none.output == 0
            &&& none.cache_creation == 0 && none.cache_read == 0
            &&& after.input - before.input == (match u.input_tokens {
                Some(n) => n as int,
                None => 0,
            })
            &&& after.output - before.output == (match u.output_tokens {
                Some(n) => n as int,
                None => 0,
            })
            &&& after.cache_creation - before.cache_creation == (
            match u.cache_creation_input_tokens {
                Some(n) => n as int,
                None => 0,
            })
            &&& after.cache_read - before.cache_read == (match u.cache_read_input_tokens {
                Some(n) => n as int,
                None => 0,
            })
        }),
{
    assert(usage.push((id, u)).drop_last() =~= usage);
}

/// A cleaned thread holds the usage of the requests whose User message it
/// holds, in their order, and a record with the four totals of just those.
pub proof fn law_usage_of_a_cleaned_thread(t: ThreadModel, config: CleanConfig)
    requires
        usage_fits(t),
    ensures
        ({
            let after = cleaned_thread(t, config);
            let usage = after.request_token_usage->0;
            let totals = usage_totals(usage);
            &&& after.request_token_usage is Some
            &&& t.request_token_usage is None ==> usage.len() == 0
            &&& t.request_token_usage matches Some(all) ==> usage == all.filter(
                |e: (Seq<char>, TokenUsage)|
                    exists|i: int|
                        0 <= i < t.messages.len() && (#[trigger] t.messages[i]) is User
                            && t.messages[i]->User_0.id == e.0,
            )
            &&& totals.input <= u64::MAX && totals.output <= u64::MAX
            &&& totals.cache_creation <= u64::MAX && totals.cache_read <= u64::MAX
            &&& after.cumulative_token_usage == Some(
                Json::Object(
                    map![
                "input_tokens"@ => Json::Num(unsigned_number(totals.input as u64)),
                "output_tokens"@ => Json::Num(unsigned_number(totals.output as u64)),
                "cache_creation_input_tokens"@ =>
                    Json::Num(unsigned_number(totals.cache_creation as u64)),
                "cache_read_input_tokens"@ =>
                    Json::Num(unsigned_number(totals.cache_read as u64))],
                ),
            )
        }),
{
    crate::clean::law_user_messages_stay(t.messages, config);
    let ids = user_ids(t.messages);
    assert(cleaned_thread(t, config).request_token_usage->0 == usage_of(t, t.messages));
    if let Some(all) = t.request_token_usage {
        law_usage_by_request(all, ids);
        let p = |e: (Seq<char>, TokenUsage)|
            exists|i: int|
                0 <= i < t.messages.len() && (#[trigger] t.messages[i]) is User
                    && t.messages[i]->User_0.id == e.0;
        assert(p =~= |e: (Seq<char>, TokenUsage)| ids.contains(e.0));
    }
}

/// What is made of content and output whose text is given: content with a text
/// is cut, output only where it is over, and either keeps its wrapping. The text
/// of a value is its string, or the string under `Text`, or the JSON text that
/// is given; `null` has none.
pub proof fn law_values_with_a_given_text(v: Json, s: Seq<char>, json: Seq<char>, limit: nat)
    ensures
        ({
            let wrapped = v is Object && v->Object_0.contains_key("Text"@);
            let cut = if wrapped {
                Json::Object(map!["Text"@ => Json::Text(truncated(s, limit))])
            } else {
                Json::Text(truncated(s, limit))
            };
            &&& clipped_content(v, Some(s), limit) == cut
            &&& clipped_content(v, None, limit) == v
            &&& byte_count(s) > limit ==> clipped_output(v, Some(s), json, limit) == cut
            &&& byte_count(s) <= limit ==> clipped_output(v, Some(s), json, limit) == v
            &&& byte_count(json) > limit ==> clipped_output(v, None, json, limit) == Json::Text(
                truncated(json, limit),
            )
            &&& byte_count(json) <= limit ==> clipped_output(v, None, json, limit) == v
            &&& text_of_content(Json::Null, json) is None
            &&& text_of_content(Json::Text(s), json) == Some(s)
            &&& wrapped && v->Object_0["Text"@] is Text ==> text_of_content(v, json) == Some(
                v->Object_0["Text"@]->Text_0,
            )
            &&& wrapped && !(v->Object_0["Text"@] is Text) ==> text_of_content(v, json) == Some(
                json,
            )
            &&& !wrapped && !(v is Text) && !(v is Null) ==> text_of_content(v, json) == Some(json)
        }),
{
}

/// A `read_file` call outside the protected zone whose path no later such call
/// reads keeps its result: with ids that are used once, a result with its id is
/// cut at the limit for files, and is not replaced by a notice.
pub proof fn law_the_last_read_keeps_its_result(
    m: Seq<MessageModel>,
    config: CleanConfig,
    i: int,
    p: int,
    r: ToolResultModel,
    s: Seq<char>,
)
    requires
        0 <= i < m.len(),
        m[i] is Agent,
        0 <= p < m[i]->Agent_0.content.len(),
        m[i]->Agent_0.content[p] is ToolUse,
        forall|j: int, q: int|
            0 <= j < m.len() && m[j] is Agent && 0 <= q < m[j]->Agent_0.content.len() && (
            #[trigger] m[j]->Agent_0.content[q]) is ToolUse
                && m[j]->Agent_0.content[q]->ToolUse_0.id
                == m[i]->Agent_0.content[p]->ToolUse_0.id ==> j == i && q == p,
        forall|j: int, q: int, path: Seq<char>, other: Seq<char>|
            #![trigger read_stands_at(
                m,
                protected_zone(m, config.keep_last_n_dialogs as nat),
                j,
                q,
                path,
                other,
            )]
            read_stands_at(
                m,
                protected_zone(m, config.keep_last_n_dialogs as nat),
                i,
                p,
                path,
                m[i]->Agent_0.content[p]->ToolUse_0.id,
            ) && stands_before(i, p, j, q) ==> !read_stands_at(
                m,
                protected_zone(m, config.keep_last_n_dialogs as nat),
                j,
                q,
                path,
                other,
            ),
        r.tool_use_id == m[i]->Agent_0.content[p]->ToolUse_0.id,
        r.tool_name == "read_file"@,
        r.content == Some(Json::Text(s)),
        !config.skips(r.tool_name),
    ensures
        ({
            let zone = protected_zone(m, config.keep_last_n_dialogs as nat);
            let q = cleaned_result(r, config, superseded_ids(file_reads(m, zone)));
            q.content == Some(Json::Text(truncated(s, config.read_file_limit as nat)))
        }),
{
    let zone = protected_zone(m, config.keep_last_n_dialogs as nat);
    law_other_calls_and_last_reads_are_not_superseded(m, zone, i, p);
    law_limits_by_tool(r.tool_name, config);
    law_results_by_their_shape(r, config, superseded_ids(file_reads(m, zone)));
}

/// The ids of the User messages, in order, and whether the totals of the usage
/// that a cleanup keeps can be held.
pub proof fn law_user_ids_and_their_usage(t: ThreadModel)
    ensures
        user_id_list(t.messages) == t.messages.filter(|x: MessageModel| x is User).map_values(
            |x: MessageModel| x->User_0.id,
        ),
        ({
            let kept = match t.request_token_usage {
                Some(all) => all.filter(
                    |e: (Seq<char>, TokenUsage)|
                        exists|i: int|
                            0 <= i < t.messages.len() && (#[trigger] t.messages[i]) is User
                                && t.messages[i]->User_0.id == e.0,
                ),
                None => Seq::empty(),
            };
            usage_fits(t) <==> usage_totals(kept).input <= u64::MAX && usage_totals(kept).output
                <= u64::MAX && usage_totals(kept).cache_creation <= u64::MAX && usage_totals(
                kept,
            ).cache_read <= u64::MAX
        }),
{
    lemma_user_id_list(t.messages);
    let ids = user_ids(t.messages);
    if let Some(all) = t.request_token_usage {
        law_usage_by_request(all, ids);
        let p = |e: (Seq<char>, TokenUsage)|
            exists|i: int|
                0 <= i < t.messages.len() && (#[trigger] t.messages[i]) is User
                    && t.messages[i]->User_0.id == e.0;
        assert(p =~= |e: (Seq<char>, TokenUsage)| ids.contains(e.0));
    }
}

proof fn lemma_user_id_list(m: Seq<MessageModel>)
    ensures
        user_id_list(m) == m.filter(|x: MessageModel| x is User).map_values(
            |x: MessageModel| x->User_0.id,
        ),
    decreases m.len(),
{
    reveal(Seq::filter);
    let id = |x: MessageModel| x->User_0.id;
    if m.len() > 0 {
        lemma_user_id_list(m.drop_last());
        let users = m.drop_last().filter(|x: MessageModel| x is User);
        if m.last() is User {
            assert(users.push(m.last()).map_values(id) =~= users.map_values(id).push(id(m.last())));
        }
    } else {
        assert(user_id_list(m) =~= m.filter(|x: MessageModel| x is User).map_values(id));
    }
}

} // verus!
