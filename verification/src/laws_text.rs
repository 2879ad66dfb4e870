//! How numbers and sizes are written, and how texts are cut, shortened and
//! searched.
use crate::chars::occurs;
use crate::cli::{digits_value, listed_summary, numeral_value};
use crate::laws::law_truncation_keeps_the_longest_prefix;
use crate::size_label::{as_double, double_step, nearest, size_label};
use crate::text::{byte_count, decimal, fitting_chars, truncated};
use vstd::prelude::*;

verus! {

/// The numeral of a number below ten is its digit, and a digit behind a numeral
/// makes it ten times the number and the digit.
pub proof fn law_numerals_grow_by_digits(n: nat, d: nat)
    requires
        d < 10,
    ensures
        decimal(d) == seq![seq!['0', '1', '2', '3', '4', '5', '6', '7', '8', '9'][d as int]],
        n > 0 ==> decimal(10 * n + d) == decimal(n) + decimal(d),
{
    assert(decimal(d) =~= seq![
        seq!['0', '1', '2', '3', '4', '5', '6', '7', '8', '9'][d as int],
    ]);
    if n > 0 {
        assert((10 * n + d) / 10 == n);
        assert((10 * n + d) % 10 == d);
        assert(decimal(n).push(crate::text::digit_char(d)) =~= decimal(n) + decimal(d));
    }
}

/// A numeral is read back as the number that it was written for.
pub proof fn law_numerals_read_back(n: nat)
    ensures
        decimal(n).len() > 0,
        digits_value(decimal(n)) == n,
        forall|i: int| 0 <= i < decimal(n).len() ==> '0' <= (#[trigger] decimal(n)[i]) <= '9',
        n <= usize::MAX ==> numeral_value(decimal(n)) == Some(n as usize),
        n <= usize::MAX ==> numeral_value(seq!['+'] + decimal(n)) == Some(n as usize),
    decreases n,
{
    reveal_with_fuel(digits_value, 2);
    if n < 10 {
        assert(decimal(n).drop_last() =~= Seq::empty());
    } else {
        law_numerals_read_back(n / 10);
        assert(decimal(n).drop_last() =~= decimal(n / 10));
    }
    assert((seq!['+'] + decimal(n)).drop_first() =~= decimal(n));
}

/// The value of digits: a digit more makes it ten times as much and the digit.
/// A numeral with anything else in it, or with no digit, is refused.
pub proof fn law_digits_count_by_ten(s: Seq<char>, c: char)
    ensures
        digits_value(Seq::empty()) == 0,
        '0' <= c <= '9' ==> digits_value(s.push(c)) == 10 * digits_value(s) + (c as int
            - '0' as int),
        numeral_value(Seq::empty()) is None,
        numeral_value(seq!['+']) is None,
        (exists|i: int| 0 < i < s.len() && !('0' <= #[trigger] s[i] <= '9')) ==> numeral_value(
            s,
        ) is None,
        s.len() > 0 && s[0] != '+' && !('0' <= s[0] <= '9') ==> numeral_value(s) is None,
        s.len() > 0 && (forall|i: int| 0 <= i < s.len() ==> '0' <= #[trigger] s[i] <= '9') ==> (
        if digits_value(s) <= usize::MAX {
            numeral_value(s) == Some(digits_value(s) as usize) && numeral_value(seq!['+'] + s)
                == Some(digits_value(s) as usize)
        } else {
            numeral_value(s) is None && numeral_value(seq!['+'] + s) is None
        }),
{
    assert(s.push(c).drop_last() =~= s);
    assert((seq!['+'] + s).drop_first() =~= s);
    assert(seq!['+'].drop_first() =~= Seq::<char>::empty());
    if exists|i: int| 0 < i < s.len() && !('0' <= #[trigger] s[i] <= '9') {
        let i = choose|i: int| 0 < i < s.len() && !('0' <= #[trigger] s[i] <= '9');
        if s[0] == '+' {
            assert(s.drop_first()[i - 1] == s[i]);
        }
    }
}

/// A text that fits stays. A longer one keeps a prefix that fits and to which
/// no character can be added, and then says how many bytes are missing.
pub proof fn law_cut_texts_say_what_is_missing(s: Seq<char>, max: nat)
    ensures
        byte_count(s) <= max ==> truncated(s, max) == s,
        byte_count(s) > max ==> exists|k: int|
            0 <= k < s.len() && byte_count(#[trigger] s.take(k)) <= max && byte_count(
                s.take(k + 1),
            ) > max && truncated(s, max) == s.take(k) + "\n... [TRUNCATED: "@ + decimal(
                (byte_count(s) - byte_count(s.take(k))) as nat,
            ) + " bytes omitted]"@,
{
    law_truncation_keeps_the_longest_prefix(s, max);
    if byte_count(s) > max {
        let k = fitting_chars(s, max as int) as int;
        let kept = s.take(k);
        assert(truncated(s, max) =~= kept + "\n... [TRUNCATED: "@ + decimal(
            (byte_count(s) - byte_count(kept)) as nat,
        ) + " bytes omitted]"@);
    }
}

proof fn lemma_nearest(n: nat, d: nat)
    requires
        d > 0,
    ensures
        ({
            let q = nearest(n, d) as int;
            &&& 2 * (n - q * d) <= d
            &&& 2 * (q * d - n) <= d
            &&& 2 * (n - q * d) == d || 2 * (q * d - n) == d ==> q % 2 == 0
        }),
{
    let q = n / d;
    let r = n % d;
    vstd::arithmetic::div_mod::lemma_fundamental_div_mod(n as int, d as int);
    assert(d * q == q * d) by (nonlinear_arith);
    assert((q + 1) * d == q * d + d) by (nonlinear_arith);
}

proof fn lemma_double_step(n: nat)
    ensures
        double_step(n) >= 1,
        n < 0x20_0000_0000_0000 ==> double_step(n) == 1,
        n >= 0x20_0000_0000_0000 ==> 0x10_0000_0000_0000 * double_step(n) <= n
            < 0x20_0000_0000_0000 * double_step(n),
    decreases n,
{
    if n >= 0x20_0000_0000_0000 {
        lemma_double_step(n / 2);
        if n / 2 < 0x20_0000_0000_0000 {
            assert(double_step(n / 2) == 1);
        }
    }
}

/// The number that a double holds: the number itself below two to the power of
/// 53, and otherwise the nearest that keeps 53 bits, the even one of two.
pub proof fn law_doubles_keep_53_bits(n: nat)
    ensures
        n < 0x20_0000_0000_0000 ==> as_double(n) == n,
        n >= 0x20_0000_0000_0000 ==> exists|bits: int, step: int|
            #![trigger bits * step]
            as_double(n) == bits * step && 0x10_0000_0000_0000 * step <= n < 0x20_0000_0000_0000
                * step && 2 * (n - bits * step) <= step && 2 * (bits * step - n) <= step && (2 * (n
                - bits * step) == step || 2 * (bits * step - n) == step ==> bits % 2 == 0),
        n >= 0x10_0000_0000_0000 ==> double_step(2 * n) == 2 * double_step(n),
{
    lemma_double_step(n);
    let step = double_step(n);
    lemma_nearest(n, step);
    if n < 0x20_0000_0000_0000 {
        assert(nearest(n, 1) == n);
        assert(n * 1 == n);
    } else {
        let bits = nearest(n, step) as int;
        assert(as_double(n) == bits * (step as int));
    }
    if n >= 0x10_0000_0000_0000 {
        assert(2 * n / 2 == n);
    }
}

/// How a size is written: bytes below one KB, then KB or MB with one digit
/// behind the point, which is the nearest to the size, the even one of two.
pub proof fn law_sizes_are_written_to_the_nearest_tenth(n: nat)
    ensures
        n < 1024 ==> size_label(n) == decimal(n) + " B"@,
        n >= 1024 ==> exists|whole: nat, tenth: nat|
            #![trigger decimal(whole), decimal(tenth)]
            {
                let unit: int = if n < 1024 * 1024 {
                    1024
                } else {
                    1_048_576
                };
                let off = (10 * whole + tenth) * unit - 10 * as_double(n);
                &&& tenth < 10
                &&& 2 * off <= unit
                &&& -2 * off <= unit
                &&& 2 * off == unit || -2 * off == unit ==> tenth % 2 == 0
                &&& size_label(n) == decimal(whole) + "."@ + decimal(tenth) + (if n < 1024 * 1024 {
                    " KB"@
                } else {
                    " MB"@
                })
            },
{
    if n >= 1024 {
        let unit: nat = if n < 1024 * 1024 {
            1024
        } else {
            1024 * 1024
        };
        let tenths = nearest(10 * as_double(n), unit);
        lemma_nearest(10 * as_double(n), unit);
        let whole = tenths / 10;
        let tenth = tenths % 10;
        assert(tenths == 10 * whole + tenth);
        assert(size_label(n) == decimal(whole) + "."@ + decimal(tenth) + (if n < 1024 * 1024 {
            " KB"@
        } else {
            " MB"@
        }));
    }
}

/// A text occurs in another exactly if that is made of something, the text and
/// something; the empty text occurs everywhere.
pub proof fn law_what_occurs_has_two_sides(s: Seq<char>, needle: Seq<char>)
    ensures
        occurs(s, needle) <==> exists|a: Seq<char>, b: Seq<char>| s == #[trigger] (a + needle + b),
        occurs(s, Seq::empty()),
        occurs(s, s),
{
    if occurs(s, needle) {
        let i = choose|i: int| crate::chars::occurs_at(s, needle, i);
        let a = s.take(i);
        let b = s.skip(i + needle.len());
        assert(s =~= a + needle + b);
    }
    if exists|a: Seq<char>, b: Seq<char>| s == #[trigger] (a + needle + b) {
        let (a, b) = choose|a: Seq<char>, b: Seq<char>| s == #[trigger] (a + needle + b);
        assert(s.subrange(a.len() as int, (a.len() + needle.len()) as int) =~= needle);
        assert(crate::chars::occurs_at(s, needle, a.len() as int));
    }
    assert(s.subrange(0, 0) =~= Seq::<char>::empty());
    assert(crate::chars::occurs_at(s, Seq::empty(), 0));
    assert(s.subrange(0, s.len() as int) =~= s);
    assert(crate::chars::occurs_at(s, s, 0));
}

/// A summary of at most 60 bytes is listed as it is, a longer one by its first
/// 57 characters and three dots, and an empty one by a note.
pub proof fn law_summaries_are_listed_in_one_line(s: Seq<char>)
    ensures
        s.len() == 0 ==> listed_summary(s) == "(no summary)"@,
        s.len() > 0 && byte_count(s) <= 60 ==> listed_summary(s) == s,
        byte_count(s) > 60 && s.len() >= 57 ==> listed_summary(s) == s.take(57) + "..."@,
        byte_count(s) > 60 && s.len() < 57 ==> listed_summary(s) == s + "..."@,
{
    if s.len() == 57 {
        assert(s.take(57) =~= s);
    }
    if s.len() == 0 {
        assert(s =~= Seq::empty());
        assert(vstd::utf8::encode_utf8(s).len() == 0);
    }
}

} // verus!
