//! Repeated reads of one file: only the last call per path keeps its result.
use crate::duplicate::{opt_view, seq_views};
use crate::text::same_text;
use crate::types::{
    AgentContent, AgentContentModel, Message, MessageModel, ToolUseBlock, ToolUseModel,
};
use std::collections::HashSet;
use vstd::hash_set::StringHashSet;
use vstd::prelude::*;

verus! {

/// A read of a file: its path and the id of the tool call.
pub type FileRead = (Seq<char>, Seq<char>);

/// The member `path` of a tool call's input, where it is a string.
pub open spec fn input_path(t: ToolUseModel) -> Option<Seq<char>> {
    match t.input {
        Some(v) => v.text_member("path"@),
        None => None,
    }
}

/// The file read that a block of an Agent message makes, if it makes one.
pub open spec fn block_read(c: AgentContentModel) -> Option<FileRead> {
    match c {
        AgentContentModel::ToolUse(t) => if t.name == "read_file"@ {
            match input_path(t) {
                Some(path) => Some((path, t.id)),
                None => None,
            }
        } else {
            None
        },
        _ => None,
    }
}

/// The file reads of a list of blocks, in order.
pub open spec fn content_reads(c: Seq<AgentContentModel>) -> Seq<FileRead>
    decreases c.len(),
{
    if c.len() == 0 {
        Seq::empty()
    } else {
        match block_read(c.last()) {
            Some(read) => content_reads(c.drop_last()).push(read),
            None => content_reads(c.drop_last()),
        }
    }
}

/// The file reads of the Agent messages outside `zone`, in order.
pub open spec fn file_reads(m: Seq<MessageModel>, zone: Set<usize>) -> Seq<FileRead>
    decreases m.len(),
{
    if m.len() == 0 {
        Seq::empty()
    } else {
        let before = file_reads(m.drop_last(), zone);
        match m.last() {
            MessageModel::Agent(agent) => if zone.contains((m.len() - 1) as usize) {
                before
            } else {
                before + content_reads(agent.content)
            },
            _ => before,
        }
    }
}

/// The read at `i` is followed by another read of the same path.
pub open spec fn is_superseded(reads: Seq<FileRead>, i: int) -> bool {
    exists|j: int| i < j < reads.len() && (#[trigger] reads[j]).0 == reads[i].0
}

/// The ids of the reads that are followed by another read of the same path.
pub open spec fn superseded_ids(reads: Seq<FileRead>) -> Set<Seq<char>> {
    Set::new(
        |id: Seq<char>|
            exists|i: int|
                0 <= i < reads.len() && (#[trigger] reads[i]).1 == id && is_superseded(reads, i),
    )
}

/// Returns the path that a `read_file` call was given.
pub fn extract_read_file_path(tool_use: &ToolUseBlock) -> (r: Option<String>)
    ensures
        opt_view(r) == input_path(tool_use@),
{
    match &tool_use.input {
        Some(v) => match v.get_str("path") {
            Some(s) => Some(s.to_owned()),
            None => None,
        },
        None => None,
    }
}

/// What a list of reads stands for.
pub open spec fn read_views(s: Seq<(String, String)>) -> Seq<FileRead> {
    Seq::new(s.len(), |i: int| (s[i].0@, s[i].1@))
}

/// Appends the file reads of a list of blocks.
fn collect_content_reads(content: &Vec<AgentContent>, reads: &mut Vec<(String, String)>)
    ensures
        read_views(final(reads)@) == read_views(old(reads)@) + content_reads(
            seq_views(content@),
        ),
{
    let ghost blocks = seq_views(content@);
    let ghost start = read_views(reads@);
    let mut i: usize = 0;
    assert(blocks.take(0) =~= Seq::<AgentContentModel>::empty());
    assert(start + content_reads(blocks.take(0)) =~= start);
    while i < content.len()
        invariant
            i <= content@.len(),
            blocks == seq_views(content@),
            read_views(reads@) == start + content_reads(blocks.take(i as int)),
        decreases content@.len() - i,
    {
        let ghost before = reads@;
        assert(blocks.take(i + 1).drop_last() =~= blocks.take(i as int));
        assert(blocks.take(i + 1).last() == content@[i as int]@);
        match &content[i] {
            AgentContent::ToolUse(tu) => {
                if same_text(tu.name.as_str(), "read_file") {
                    match extract_read_file_path(tu) {
                        Some(path) => {
                            reads.push((path, tu.id.clone()));
                            assert(read_views(reads@) =~= read_views(before).push(
                                (path@, tu.id@),
                            ));
                        },
                        None => {},
                    }
                }
            },
            _ => {},
        }
        assert(read_views(reads@) =~= start + content_reads(blocks.take(i + 1)));
        i += 1;
    }
    assert(blocks.take(i as int) =~= blocks);
}

/// The file reads of the Agent messages outside `protected`, in order.
fn collect_file_reads(messages: &[Message], protected: &HashSet<usize>) -> (r: Vec<
    (String, String),
>)
    ensures
        read_views(r@) == file_reads(seq_views(messages@), protected@),
{
    broadcast use vstd::std_specs::hash::group_hash_axioms;

    let ghost m = seq_views(messages@);
    let mut reads: Vec<(String, String)> = Vec::new();
    let mut i: usize = 0;
    assert(m.take(0) =~= Seq::<MessageModel>::empty());
    assert(read_views(reads@) =~= file_reads(m.take(0), protected@));
    while i < messages.len()
        invariant
            i <= messages@.len(),
            m == seq_views(messages@),
            read_views(reads@) == file_reads(m.take(i as int), protected@),
        decreases messages@.len() - i,
    {
        assert(m.take(i + 1).drop_last() =~= m.take(i as int));
        assert(m.take(i + 1).last() == messages@[i as int]@);
        if !protected.contains(&i) {
            match &messages[i] {
                Message::Agent { agent } => {
                    collect_content_reads(&agent.content, &mut reads);
                },
                _ => {},
            }
        }
        i += 1;
    }
    assert(m.take(i as int) =~= m);
    reads
}

/// Returns the ids of the `read_file` calls outside `protected` whose results
/// should be replaced: all but the last call per path.
pub fn compute_duplicate_read_file_ids(messages: &[Message], protected: &HashSet<usize>) -> (r:
    StringHashSet)
    ensures
        r@ == superseded_ids(file_reads(seq_views(messages@), protected@)),
{
    let reads = collect_file_reads(messages, protected);
    let ghost all = read_views(reads@);
    let mut seen = StringHashSet::new();
    let mut dups = StringHashSet::new();
    let mut i: usize = reads.len();
    while i > 0
        invariant
            i <= reads@.len(),
            all == read_views(reads@),
            forall|path: Seq<char>| #[trigger]
                seen@.contains(path) <==> exists|j: int|
                    i <= j < all.len() && (#[trigger] all[j]).0 == path,
            forall|id: Seq<char>| #[trigger]
                dups@.contains(id) <==> exists|j: int|
                    i <= j < all.len() && (#[trigger] all[j]).1 == id && is_superseded(all, j),
        decreases i,
    {
        i -= 1;
        let ghost old_seen = seen@;
        let ghost old_dups = dups@;
        assert(all[i as int] == (reads@[i as int].0@, reads@[i as int].1@));
        if seen.contains(reads[i].0.as_str()) {
            dups.insert(reads[i].1.clone());
            assert(is_superseded(all, i as int));
        } else {
            assert(!is_superseded(all, i as int));
        }
        seen.insert(reads[i].0.clone());
        assert forall|path: Seq<char>| #[trigger] seen@.contains(path) <==> exists|j: int|
            i <= j < all.len() && (#[trigger] all[j]).0 == path by {
            if path == all[i as int].0 {
                assert(seen@.contains(path));
            } else if old_seen.contains(path) {
                let j = choose|j: int| i + 1 <= j < all.len() && (#[trigger] all[j]).0 == path;
                assert(all[j].0 == path);
            }
        }
        assert forall|id: Seq<char>| #[trigger] dups@.contains(id) <==> exists|j: int|
            i <= j < all.len() && (#[trigger] all[j]).1 == id && is_superseded(all, j) by {
            if old_dups.contains(id) {
                let j = choose|j: int|
                    i + 1 <= j < all.len() && (#[trigger] all[j]).1 == id && is_superseded(all, j);
                assert(all[j].1 == id);
            }
        }
    }
    assert(dups@ =~= superseded_ids(all));
    dups
}

} // verus!
