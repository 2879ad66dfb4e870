//! The protected zone: the last complete User-Agent dialogs of a thread, which
//! a cleanup leaves alone.
use crate::duplicate::seq_views;
use crate::types::{Message, MessageModel};
use std::collections::HashSet;
use vstd::prelude::*;

verus! {

/// A dialog starts at `i`: a User message directly followed by an Agent message.
pub open spec fn is_dialog(m: Seq<MessageModel>, i: int) -> bool {
    0 <= i && i + 1 < m.len() && m[i] is User && m[i + 1] is Agent
}

/// Number of dialogs that start at `i` or later.
pub open spec fn dialogs_from(m: Seq<MessageModel>, i: int) -> nat
    decreases m.len() - i,
{
    if i >= m.len() {
        0
    } else if is_dialog(m, i) {
        1 + dialogs_from(m, i + 1)
    } else {
        dialogs_from(m, i + 1)
    }
}

/// A dialog starts at `i` and is one of the last `keep`.
pub open spec fn is_kept_dialog(m: Seq<MessageModel>, keep: nat, i: int) -> bool {
    is_dialog(m, i) && dialogs_from(m, i) <= keep
}

/// The message at `i` belongs to one of the last `keep` dialogs.
pub open spec fn is_protected(m: Seq<MessageModel>, keep: nat, i: int) -> bool {
    is_kept_dialog(m, keep, i) || is_kept_dialog(m, keep, i - 1)
}

/// The protected zone as a set of message indices.
pub open spec fn protected_zone(m: Seq<MessageModel>, keep: nat) -> Set<usize> {
    Set::new(|i: usize| is_protected(m, keep, i as int))
}

/// Number of messages in the protected zone.
pub open spec fn protected_count(m: Seq<MessageModel>, keep: nat) -> nat {
    if dialogs_from(m, 0) <= keep {
        2 * dialogs_from(m, 0)
    } else {
        2 * keep
    }
}

/// Returns the set of message indices that belong to the last
/// `keep_last_n` complete User-Agent dialogs.
pub fn compute_protected_indices(messages: &[Message], keep_last_n: usize) -> (r: HashSet<usize>)
    ensures
        r@ == protected_zone(seq_views(messages@), keep_last_n as nat),
        r@.len() == protected_count(seq_views(messages@), keep_last_n as nat),
{
    broadcast use vstd::std_specs::hash::group_hash_axioms;

    let ghost m = seq_views(messages@);
    let mut starts: Vec<usize> = Vec::new();
    let mut i: usize = 0;
    while i < messages.len()
        invariant
            m == seq_views(messages@),
            i <= messages@.len(),
            starts@.len() + dialogs_from(m, i as int) == dialogs_from(m, 0),
            i > 0 ==> !is_dialog(m, i - 1),
            forall|k: int|
                #![trigger starts@[k]]
                0 <= k < starts@.len() ==> is_dialog(m, starts@[k] as int) && starts@[k] < i
                    && dialogs_from(m, starts@[k] as int) == dialogs_from(m, 0) - k,
            forall|j: int|
                0 <= j < i && #[trigger] is_dialog(m, j) ==> exists|k: int|
                    0 <= k < starts@.len() && starts@[k] == j,
            forall|k: int, l: int|
                0 <= k < l < starts@.len() ==> (#[trigger] starts@[k]) + 1 < (
                #[trigger] starts@[l]),
        decreases messages@.len() - i,
    {
        proof {
            assert(m[i as int] == messages@[i as int]@);
        }
        let is_user = match &messages[i] {
            Message::User { .. } => true,
            _ => false,
        };
        if is_user && i + 1 < messages.len() {
            let ghost before = starts@;
            let is_agent = match &messages[i + 1] {
                Message::Agent { .. } => true,
                _ => false,
            };
            assert(m[i + 1] == messages@[i + 1]@);
            if is_agent {
                assert(is_dialog(m, i as int));
                assert(!is_dialog(m, i + 1));
                assert(dialogs_from(m, i as int) == 1 + dialogs_from(m, i + 1));
                assert(dialogs_from(m, i + 1) == dialogs_from(m, i + 2));
                starts.push(i);
                assert forall|j: int| 0 <= j < i + 2 && #[trigger] is_dialog(m, j) implies exists|
                    k: int,
                |
                    0 <= k < starts@.len() && starts@[k] == j by {
                    if j < i {
                        let k = choose|k: int| 0 <= k < before.len() && before[k] == j;
                        assert(starts@[k] == j);
                    } else {
                        assert(starts@[before.len() as int] == j);
                    }
                }
                i += 2;
                continue;
            }
        }
        assert(!is_dialog(m, i as int));
        i += 1;
    }
    let total: usize = starts.len();
    let first: usize = if total > keep_last_n {
        total - keep_last_n
    } else {
        0
    };
    let mut set: HashSet<usize> = HashSet::new();
    let mut k: usize = first;
    while k < total
        invariant
            m == seq_views(messages@),
            first <= k <= total,
            total == starts@.len(),
            total == dialogs_from(m, 0),
            forall|k: int|
                #![trigger starts@[k]]
                0 <= k < starts@.len() ==> is_dialog(m, starts@[k] as int),
            forall|k: int, l: int|
                0 <= k < l < starts@.len() ==> (#[trigger] starts@[k]) + 1 < (
                #[trigger] starts@[l]),
            m.len() <= usize::MAX,
            set@.finite(),
            set@.len() == 2 * (k - first),
            forall|j: usize| #[trigger]
                set@.contains(j) <==> exists|l: int|
                    first <= l < k && (j == #[trigger] starts@[l] || j == starts@[l] + 1),
        decreases total - k,
    {
        let s: usize = starts[k];
        let ghost before = set@;
        assert(is_dialog(m, s as int));
        assert(!before.contains(s));
        set.insert(s);
        assert(!set@.contains((s + 1) as usize));
        set.insert(s + 1);
        assert forall|j: usize| #[trigger] set@.contains(j) <==> exists|l: int|
            first <= l < k + 1 && (j == #[trigger] starts@[l] || j == starts@[l] + 1) by {
            if set@.contains(j) {
                if j == s || j == s + 1 {
                    assert(j == starts@[k as int] || j == starts@[k as int] + 1);
                } else {
                    assert(before.contains(j));
                }
            }
        }
        k += 1;
    }
    proof {
        assert forall|j: usize|
            set@.contains(j) <==> is_protected(m, keep_last_n as nat, j as int) by {
            if set@.contains(j) {
                let l = choose|l: int|
                    first <= l < total && (j == #[trigger] starts@[l] || j == starts@[l] + 1);
                assert(is_kept_dialog(m, keep_last_n as nat, starts@[l] as int));
            }
            if is_protected(m, keep_last_n as nat, j as int) {
                let d = if is_kept_dialog(m, keep_last_n as nat, j as int) {
                    j as int
                } else {
                    j - 1
                };
                assert(is_kept_dialog(m, keep_last_n as nat, d));
                assert(is_dialog(m, d));
                let l = choose|l: int| 0 <= l < starts@.len() && starts@[l] == d;
                assert(starts@[l] == d);
            }
        }
        assert(set@ =~= protected_zone(m, keep_last_n as nat));
    }
    set
}

} // verus!
