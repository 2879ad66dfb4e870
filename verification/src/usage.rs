//! Token usage of the requests that remain after a cleanup.
use crate::json::{unsigned_number, Json, JsonValue};
use crate::str_map::{has_key, key_index, keys_distinct, StrMap};
use crate::types::TokenUsage;
use vstd::arithmetic::overflow::CheckedU64;
use vstd::hash_set::StringHashSet;
use vstd::prelude::*;

verus! {

/// Tokens of several requests together.
pub struct TokenTotals {
    pub input: nat,
    pub output: nat,
    pub cache_creation: nat,
    pub cache_read: nat,
}

impl TokenTotals {
    /// Whether each total can be held in 64 bits.
    pub open spec fn fits(self) -> bool {
        &&& self.input <= u64::MAX
        &&& self.output <= u64::MAX
        &&& self.cache_creation <= u64::MAX
        &&& self.cache_read <= u64::MAX
    }
}

/// A count that is zero where it is absent.
pub open spec fn tokens(o: Option<u64>) -> nat {
    match o {
        Some(n) => n as nat,
        None => 0,
    }
}

/// The totals of a list of requests.
pub open spec fn usage_totals(usage: Seq<(Seq<char>, TokenUsage)>) -> TokenTotals
    decreases usage.len(),
{
    if usage.len() == 0 {
        TokenTotals { input: 0, output: 0, cache_creation: 0, cache_read: 0 }
    } else {
        let before = usage_totals(usage.drop_last());
        let last = usage.last().1;
        TokenTotals {
            input: before.input + tokens(last.input_tokens),
            output: before.output + tokens(last.output_tokens),
            cache_creation: before.cache_creation + tokens(last.cache_creation_input_tokens),
            cache_read: before.cache_read + tokens(last.cache_read_input_tokens),
        }
    }
}

/// The entries whose request id is in `ids`.
pub open spec fn kept_usage(usage: Seq<(Seq<char>, TokenUsage)>, ids: Set<Seq<char>>) -> Seq<
    (Seq<char>, TokenUsage),
>
    decreases usage.len(),
{
    if usage.len() == 0 {
        Seq::empty()
    } else if ids.contains(usage.last().0) {
        kept_usage(usage.drop_last(), ids).push(usage.last())
    } else {
        kept_usage(usage.drop_last(), ids)
    }
}

/// The record of the totals: an object with the four counts.
pub open spec fn totals_record(t: TokenTotals) -> Json {
    Json::Object(
        Map::<Seq<char>, Json>::empty().insert(
            "input_tokens"@,
            Json::Num(unsigned_number(t.input as u64)),
        ).insert("output_tokens"@, Json::Num(unsigned_number(t.output as u64))).insert(
            "cache_creation_input_tokens"@,
            Json::Num(unsigned_number(t.cache_creation as u64)),
        ).insert("cache_read_input_tokens"@, Json::Num(unsigned_number(t.cache_read as u64))),
    )
}

fn tokens_or_zero(o: Option<u64>) -> (r: u64)
    ensures
        r == tokens(o),
{
    match o {
        Some(n) => n,
        None => 0,
    }
}

/// The four totals of a token usage record, where each fits in 64 bits:
/// input, output, cache creation and cache read.
pub fn sum_usage(request_usage: &StrMap<TokenUsage>) -> (r: Option<(u64, u64, u64, u64)>)
    ensures
        r is Some <==> usage_totals(request_usage@).fits(),
        r matches Some(t) ==> usage_totals(request_usage@) == (TokenTotals {
            input: t.0 as nat,
            output: t.1 as nat,
            cache_creation: t.2 as nat,
            cache_read: t.3 as nat,
        }),
{
    let mut input = CheckedU64::new(0);
    let mut output = CheckedU64::new(0);
    let mut cache_creation = CheckedU64::new(0);
    let mut cache_read = CheckedU64::new(0);
    let ghost usage = request_usage@;
    let len: usize = request_usage.len();
    let mut i: usize = 0;
    assert(usage.take(0) =~= Seq::<(Seq<char>, TokenUsage)>::empty());
    while i < len
        invariant
            i <= len,
            usage == request_usage@,
            len == usage.len(),
            usage_totals(usage.take(i as int)) == (TokenTotals {
                input: input@,
                output: output@,
                cache_creation: cache_creation@,
                cache_read: cache_read@,
            }),
        decreases len - i,
    {
        assert(usage.take(i + 1).drop_last() =~= usage.take(i as int));
        assert(usage.take(i + 1).last() == usage[i as int]);
        let tu = request_usage.value_at(i);
        input = input.add_value(tokens_or_zero(tu.input_tokens));
        output = output.add_value(tokens_or_zero(tu.output_tokens));
        cache_creation = cache_creation.add_value(tokens_or_zero(tu.cache_creation_input_tokens));
        cache_read = cache_read.add_value(tokens_or_zero(tu.cache_read_input_tokens));
        i += 1;
    }
    assert(usage.take(i as int) =~= usage);
    match (
        input.to_option(),
        output.to_option(),
        cache_creation.to_option(),
        cache_read.to_option(),
    ) {
        (Some(a), Some(b), Some(c), Some(d)) => Some((a, b, c, d)),
        _ => None,
    }
}

/// Sums up the token usage of all requests; a count that is absent is zero.
pub fn recalculate_cumulative(request_usage: &StrMap<TokenUsage>) -> (r: JsonValue)
    requires
        usage_totals(request_usage@).fits(),
    ensures
        r@ == totals_record(usage_totals(request_usage@)),
{
    let (input, output, cache_creation, cache_read) = sum_usage(request_usage).unwrap();
    JsonValue::object("input_tokens", JsonValue::unsigned(input)).with_member(
        "output_tokens",
        JsonValue::unsigned(output),
    ).with_member("cache_creation_input_tokens", JsonValue::unsigned(cache_creation)).with_member(
        "cache_read_input_tokens",
        JsonValue::unsigned(cache_read),
    )
}

/// A filtered list of entries has no key that the full list does not have.
proof fn lemma_kept_usage_keys(
    usage: Seq<(Seq<char>, TokenUsage)>,
    ids: Set<Seq<char>>,
    k: int,
)
    requires
        0 <= k < kept_usage(usage, ids).len(),
    ensures
        exists|i: int| 0 <= i < usage.len() && #[trigger] usage[i] == kept_usage(usage, ids)[k],
    decreases usage.len(),
{
    if usage.len() > 0 {
        let rest = kept_usage(usage.drop_last(), ids);
        if k < rest.len() {
            lemma_kept_usage_keys(usage.drop_last(), ids, k);
            let i = choose|i: int|
                0 <= i < usage.len() - 1 && #[trigger] usage.drop_last()[i] == rest[k];
            assert(usage[i] == rest[k]);
        } else {
            assert(usage[usage.len() - 1] == kept_usage(usage, ids)[k]);
        }
    }
}

/// The entries of a token usage record whose request id is in `ids`.
pub fn filter_usage(usage: &StrMap<TokenUsage>, ids: &StringHashSet) -> (r: StrMap<TokenUsage>)
    ensures
        r@ == kept_usage(usage@, ids@),
{
    let ghost all = usage@;
    let mut out: StrMap<TokenUsage> = StrMap::new();
    let len: usize = usage.len();
    let mut i: usize = 0;
    assert(all.take(0) =~= Seq::<(Seq<char>, TokenUsage)>::empty());
    while i < len
        invariant
            i <= len,
            all == usage@,
            len == all.len(),
            keys_distinct(all),
            out@ == kept_usage(all.take(i as int), ids@),
        decreases len - i,
    {
        assert(all.take(i + 1).drop_last() =~= all.take(i as int));
        assert(all.take(i + 1).last() == all[i as int]);
        if ids.contains(usage.key_at(i).as_str()) {
            let key = usage.key_at(i).clone();
            proof {
                if has_key(out@, key@) {
                    let k = key_index(out@, key@);
                    assert(out@[k].0 == key@);
                    lemma_kept_usage_keys(all.take(i as int), ids@, k);
                    let j = choose|j: int|
                        0 <= j < i && #[trigger] all.take(i as int)[j] == out@[k];
                    assert(all[j].0 == all[i as int].0);
                    assert(false);
                }
            }
            out.insert(key, *usage.value_at(i));
        }
        i += 1;
    }
    assert(all.take(i as int) =~= all);
    out
}

} // verus!
